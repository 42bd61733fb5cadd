//! The fixed-capacity vectors of `heapless` that the clustering works on,
//! and the few of their operations it calls, with what their source shows
//! of each.

use vstd::prelude::*;
use crate::kmeans::Cluster;

verus! {

/// `heapless::Vec<T, N>`: a vector stored inline with room for `N` items.
#[verifier::external_type_specification]
#[verifier::external_body]
#[verifier::reject_recursive_types(T)]
pub struct ExHeaplessVec<T, const N: usize>(heapless::Vec<T, N>);

/// The points a point vector holds, in order.
pub uninterp spec fn point_list(v: heapless::Vec<i8, 50>) -> Seq<i8>;

/// The clusters a cluster vector holds, in order.
pub uninterp spec fn cluster_list(v: heapless::Vec<Cluster, 5>) -> Seq<Cluster>;

/// `heapless::Vec::new`: an empty vector.
#[verifier::external_body]
pub(crate) fn points_new() -> (v: heapless::Vec<i8, 50>)
    ensures
        point_list(v) == Seq::<i8>::empty(),
{
    heapless::Vec::new()
}

/// `heapless::Vec::push`: appends the point when fewer than 50 are held,
/// and hands it back otherwise, leaving the vector as it was.
#[verifier::external_body]
pub(crate) fn points_push(v: &mut heapless::Vec<i8, 50>, item: i8) -> (r: Result<(), i8>)
    ensures
        point_list(*old(v)).len() < 50 ==> r is Ok && point_list(*final(v)) == point_list(
            *old(v),
        ).push(item),
        point_list(*old(v)).len() >= 50 ==> (r matches Err(back) && back == item) && point_list(
            *final(v),
        ) == point_list(*old(v)),
{
    v.push(item)
}

/// `len` of the slice a `heapless::Vec` dereferences to: the number of
/// points held, never more than the capacity.
#[verifier::external_body]
pub(crate) fn points_len(v: &heapless::Vec<i8, 50>) -> (n: usize)
    ensures
        n == point_list(*v).len(),
        n <= 50,
{
    v.len()
}

/// Indexing the slice a `heapless::Vec` dereferences to.
#[verifier::external_body]
pub(crate) fn points_get(v: &heapless::Vec<i8, 50>, i: usize) -> (x: i8)
    requires
        i < point_list(*v).len(),
    ensures
        x == point_list(*v)[i as int],
{
    v[i]
}

/// `heapless::Vec::clear`: removes every point.
#[verifier::external_body]
pub(crate) fn points_clear(v: &mut heapless::Vec<i8, 50>)
    ensures
        point_list(*final(v)) == Seq::<i8>::empty(),
{
    v.clear()
}

/// `heapless::Vec::new`: an empty vector.
#[verifier::external_body]
pub(crate) fn clusters_new() -> (v: heapless::Vec<Cluster, 5>)
    ensures
        cluster_list(v) == Seq::<Cluster>::empty(),
{
    heapless::Vec::new()
}

/// `heapless::Vec::push`: appends the cluster when fewer than 5 are held,
/// and hands it back otherwise, leaving the vector as it was.
#[verifier::external_body]
pub(crate) fn clusters_push(v: &mut heapless::Vec<Cluster, 5>, item: Cluster) -> (r: Result<
    (),
    Cluster,
>)
    ensures
        cluster_list(*old(v)).len() < 5 ==> r is Ok && cluster_list(*final(v)) == cluster_list(
            *old(v),
        ).push(item),
        cluster_list(*old(v)).len() >= 5 ==> (r matches Err(back) && back == item) && cluster_list(
            *final(v),
        ) == cluster_list(*old(v)),
{
    v.push(item)
}

/// Indexing the slice a `heapless::Vec` dereferences to.
#[verifier::external_body]
pub(crate) fn clusters_get(v: &heapless::Vec<Cluster, 5>, i: usize) -> (c: &Cluster)
    requires
        i < cluster_list(*v).len(),
    ensures
        *c == cluster_list(*v)[i as int],
{
    &v[i]
}

/// Mutable indexing of the slice a `heapless::Vec` dereferences to, used
/// to put `item` in place of the cluster at `i`, which is handed back.
#[verifier::external_body]
pub(crate) fn clusters_replace(v: &mut heapless::Vec<Cluster, 5>, i: usize, item: Cluster) -> (r:
    Cluster)
    requires
        i < cluster_list(*old(v)).len(),
    ensures
        r == cluster_list(*old(v))[i as int],
        cluster_list(*final(v)) == cluster_list(*old(v)).update(i as int, item),
{
    core::mem::replace(&mut v[i], item)
}

} // verus!
