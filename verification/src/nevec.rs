//! Trusted interface to the `non_empty_vec` crate.
//!
//! Breadcrumbs handed out in navigation events are non-empty by
//! construction, and the library represents them with
//! [`non_empty_vec::NonEmpty`]. The type is declared opaque here; what a
//! value holds is named by the spec function [`ne_contents`], and each
//! method the library calls gets a small wrapper whose contract states,
//! over that name, what the crate's source shows.
use vstd::prelude::*;

use non_empty_vec::NonEmpty;

verus! {

#[verifier::external_type_specification]
#[verifier::external_body]
#[verifier::reject_recursive_types(T)]
pub struct ExNonEmpty<T>(NonEmpty<T>);

/// The elements held by a non-empty vector of node identifiers, in order.
pub uninterp spec fn ne_contents(v: NonEmpty<usize>) -> Seq<usize>;

/// Relies on `NonEmpty::new`: builds a one-element vector.
#[verifier::external_body]
pub fn ne_new(x: usize) -> (r: NonEmpty<usize>)
    ensures
        ne_contents(r) == seq![x],
{
    NonEmpty::new(x)
}

/// Relies on `NonEmpty::push`: appends one element at the end.
#[verifier::external_body]
pub fn ne_push(v: &mut NonEmpty<usize>, x: usize)
    ensures
        ne_contents(*final(v)) == ne_contents(*old(v)).push(x),
{
    v.push(x)
}

/// Relies on `NonEmpty::len`: the number of elements, always at least one.
#[verifier::external_body]
pub fn ne_len(v: &NonEmpty<usize>) -> (r: usize)
    ensures
        r == ne_contents(*v).len(),
        r >= 1,
{
    v.len().get()
}

/// Relies on the `Index` implementation of `NonEmpty`, which indexes the
/// underlying vector.
#[verifier::external_body]
pub fn ne_get(v: &NonEmpty<usize>, i: usize) -> (r: usize)
    requires
        i < ne_contents(*v).len(),
    ensures
        r == ne_contents(*v)[i as int],
{
    v[i]
}

/// Relies on `NonEmpty::truncate`: keeps the first `new_len` elements.
#[verifier::external_body]
pub fn ne_truncate(v: &mut NonEmpty<usize>, new_len: usize)
    requires
        1 <= new_len <= ne_contents(*old(v)).len(),
    ensures
        ne_contents(*final(v)) == ne_contents(*old(v)).take(new_len as int),
{
    v.truncate(core::num::NonZeroUsize::new(new_len).unwrap())
}

/// Relies on `<NonEmpty as Clone>::clone`, which clones the underlying
/// vector of copyable elements.
#[verifier::external_body]
pub fn ne_clone(v: &NonEmpty<usize>) -> (r: NonEmpty<usize>)
    ensures
        ne_contents(r) == ne_contents(*v),
{
    v.clone()
}

/// Relies on `From<(Vec<T>, T)> for NonEmpty<T>`: the vector's elements
/// followed by the extra element.
#[verifier::external_body]
pub fn ne_from_vec_last(xs: Vec<usize>, x: usize) -> (r: NonEmpty<usize>)
    ensures
        ne_contents(r) == xs@.push(x),
{
    (xs, x).into()
}

/// Relies on `From<(T, Vec<T>)> for NonEmpty<T>`: the extra element
/// followed by the vector's elements.
#[verifier::external_body]
pub fn ne_from_first_vec(x: usize, xs: Vec<usize>) -> (r: NonEmpty<usize>)
    ensures
        ne_contents(r) == seq![x] + xs@,
{
    (x, xs).into()
}

/// Relies on `From<NonEmpty<T>> for Vec<T>`: hands back the underlying
/// vector.
#[verifier::external_body]
pub fn ne_to_vec(v: NonEmpty<usize>) -> (r: Vec<usize>)
    ensures
        r@ == ne_contents(v),
{
    v.into()
}

/// First element of a non-empty vector.
pub fn ne_first(v: &NonEmpty<usize>) -> (r: usize)
    ensures
        r == ne_contents(*v)[0],
{
    let _len = ne_len(v);
    ne_get(v, 0)
}

/// Whether the vector holds `x`.
pub fn ne_contains(v: &NonEmpty<usize>, x: usize) -> (r: bool)
    ensures
        r == ne_contents(*v).contains(x),
{
    let len = ne_len(v);
    let mut i: usize = 0;
    while i < len
        invariant
            0 <= i <= len,
            len == ne_contents(*v).len(),
            forall|j: int| 0 <= j < i ==> ne_contents(*v)[j] != x,
        decreases len - i,
    {
        if ne_get(v, i) == x {
            assert(ne_contents(*v)[i as int] == x);
            return true;
        }
        i = i + 1;
    }
    assert(!ne_contents(*v).contains(x));
    false
}

/// Whether two non-empty vectors hold the same elements in the same order.
pub fn ne_equal(a: &NonEmpty<usize>, b: &NonEmpty<usize>) -> (r: bool)
    ensures
        r == (ne_contents(*a) =~= ne_contents(*b)),
{
    let la = ne_len(a);
    let lb = ne_len(b);
    if la != lb {
        return false;
    }
    let mut i: usize = 0;
    while i < la
        invariant
            0 <= i <= la,
            la == ne_contents(*a).len(),
            la == ne_contents(*b).len(),
            forall|j: int| 0 <= j < i ==> ne_contents(*a)[j] == ne_contents(*b)[j],
        decreases la - i,
    {
        if ne_get(a, i) != ne_get(b, i) {
            return false;
        }
        i = i + 1;
    }
    true
}

} // verus!
