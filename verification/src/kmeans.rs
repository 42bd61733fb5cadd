use vstd::prelude::*;
use crate::fixed_vec::{
    cluster_list, clusters_get, clusters_new, clusters_push, clusters_replace,
    point_list, points_clear, points_get, points_len, points_new, points_push,
};

verus! {

/// Number of clusters.
pub const NUM_CLUSTERS: usize = 5;

/// Number of assign-and-update rounds.
pub const ROUNDS: u32 = 20;

/// A cluster: the points assigned to it in the current round, and its
/// center.
pub struct Cluster {
    pub members: heapless::Vec<i8, 50>,
    pub center: i8,
}

/// Distance between a center and a point.
pub open spec fn dist(c: i8, p: i8) -> int {
    if c - p < 0 {
        p - c
    } else {
        c - p
    }
}

/// The smallest distance from `p` to the first `n` centers, and 127 when
/// that is smaller; ties keep the earlier value.
pub open spec fn min_dist(centers: Seq<i8>, p: i8, n: nat) -> int
    decreases n,
{
    if n == 0 {
        127
    } else {
        let m = min_dist(centers, p, (n - 1) as nat);
        let d = dist(centers[n - 1], p);
        if d < m {
            d
        } else {
            m
        }
    }
}

/// The first index from `i` on whose center lies at distance `d` from `p`,
/// or the number of centers when there is none.
pub open spec fn first_at(centers: Seq<i8>, p: i8, d: int, i: int) -> int
    decreases centers.len() - i,
{
    if i >= centers.len() {
        centers.len() as int
    } else if dist(centers[i], p) == d {
        i
    } else {
        first_at(centers, p, d, i + 1)
    }
}

/// The cluster a point joins: the first whose center is at the smallest
/// distance found (capped at 127); the number of centers when no center
/// lies at that distance.
pub open spec fn assigned(centers: Seq<i8>, p: i8) -> int {
    first_at(centers, p, min_dist(centers, p, centers.len()), 0)
}

/// The points of `pts` that join cluster `k`, in order.
pub open spec fn members_of(centers: Seq<i8>, pts: Seq<i8>, k: int) -> Seq<i8>
    decreases pts.len(),
{
    if pts.len() == 0 {
        Seq::empty()
    } else {
        let prev = members_of(centers, pts.drop_last(), k);
        if assigned(centers, pts.last()) == k {
            prev.push(pts.last())
        } else {
            prev
        }
    }
}

/// Sum of a sequence of points.
pub open spec fn sum(s: Seq<i8>) -> int
    decreases s.len(),
{
    if s.len() == 0 {
        0
    } else {
        sum(s.drop_last()) + s.last()
    }
}

/// Quotient of `a` by `b > 0`, rounded toward zero.
pub open spec fn trunc_div(a: int, b: int) -> int {
    if a >= 0 {
        a / b
    } else {
        -((-a) / b)
    }
}

/// Mean of a nonempty sequence of points, rounded toward zero.
pub open spec fn mean(s: Seq<i8>) -> int {
    trunc_div(sum(s), s.len() as int)
}

/// The centers after one round: each becomes the mean of the points that
/// joined it.
pub open spec fn next_centers(centers: Seq<i8>, pts: Seq<i8>) -> Seq<i8> {
    Seq::new(centers.len(), |k: int| mean(members_of(centers, pts, k)) as i8)
}

/// A round from `centers` leaves no cluster without points, so every mean
/// is defined.
pub open spec fn round_defined(centers: Seq<i8>, pts: Seq<i8>) -> bool {
    forall|k: int| 0 <= k < centers.len() ==> #[trigger] members_of(centers, pts, k).len() > 0
}

/// The starting centers: from -100 in steps of 50 in 8-bit arithmetic,
/// the fifth step wrapping around from 150 to -106.
pub open spec fn initial_centers() -> Seq<i8> {
    seq![-50i8, 0i8, 50i8, 100i8, -106i8]
}

/// The centers after `n` rounds.
pub open spec fn centers_after(pts: Seq<i8>, n: nat) -> Seq<i8>
    decreases n,
{
    if n == 0 {
        initial_centers()
    } else {
        next_centers(centers_after(pts, (n - 1) as nat), pts)
    }
}

/// Each of the first `n` rounds leaves no cluster without points.
pub open spec fn defined_through(pts: Seq<i8>, n: nat) -> bool
    decreases n,
{
    if n == 0 {
        true
    } else {
        defined_through(pts, (n - 1) as nat) && round_defined(centers_after(pts, (n - 1) as nat), pts)
    }
}

/// The centers of a sequence of clusters.
pub open spec fn centers_of(cl: Seq<Cluster>) -> Seq<i8> {
    Seq::new(cl.len(), |k: int| cl[k].center)
}

proof fn lemma_defined_prefix(pts: Seq<i8>, n: nat, m: nat)
    requires
        defined_through(pts, n),
        m < n,
    ensures
        round_defined(centers_after(pts, m), pts),
    decreases n,
{
    if m < n - 1 {
        lemma_defined_prefix(pts, (n - 1) as nat, m);
    }
}

proof fn lemma_members_len(centers: Seq<i8>, pts: Seq<i8>, k: int)
    ensures
        members_of(centers, pts, k).len() <= pts.len(),
    decreases pts.len(),
{
    if pts.len() > 0 {
        lemma_members_len(centers, pts.drop_last(), k);
    }
}

proof fn lemma_first_at_skip(centers: Seq<i8>, p: i8, d: int, k: int)
    requires
        0 <= k <= centers.len(),
        forall|j: int| 0 <= j < k ==> dist(#[trigger] centers[j], p) != d,
    ensures
        first_at(centers, p, d, 0) == first_at(centers, p, d, k),
    decreases k,
{
    if k > 0 {
        lemma_first_at_skip(centers, p, d, k - 1);
    }
}

proof fn lemma_members_step(centers: Seq<i8>, pts: Seq<i8>, j: int, k: int)
    requires
        0 <= j < pts.len(),
    ensures
        members_of(centers, pts.take(j + 1), k) == if assigned(centers, pts[j]) == k {
            members_of(centers, pts.take(j), k).push(pts[j])
        } else {
            members_of(centers, pts.take(j), k)
        },
{
    assert(pts.take(j + 1).drop_last() =~= pts.take(j));
}

proof fn lemma_first_at_found(centers: Seq<i8>, p: i8, d: int, i: int)
    requires
        0 <= i,
    ensures
        first_at(centers, p, d, i) < centers.len() ==> i <= first_at(centers, p, d, i) && dist(
            centers[first_at(centers, p, d, i)],
            p,
        ) == d,
        first_at(centers, p, d, i) >= centers.len() ==> forall|j: int|
            i <= j < centers.len() ==> dist(#[trigger] centers[j], p) != d,
        forall|j: int|
            i <= j < first_at(centers, p, d, i) && j < centers.len() ==> dist(
                #[trigger] centers[j],
                p,
            ) != d,
    decreases centers.len() - i,
{
    if i < centers.len() && dist(centers[i], p) != d {
        lemma_first_at_found(centers, p, d, i + 1);
    }
}

proof fn lemma_min_dist(centers: Seq<i8>, p: i8, n: nat)
    requires
        n <= centers.len(),
    ensures
        min_dist(centers, p, n) <= 127,
        forall|k: int| 0 <= k < n ==> min_dist(centers, p, n) <= dist(#[trigger] centers[k], p),
        min_dist(centers, p, n) < 127 ==> exists|k: int|
            0 <= k < n && min_dist(centers, p, n) == dist(#[trigger] centers[k], p),
    decreases n,
{
    if n > 0 {
        lemma_min_dist(centers, p, (n - 1) as nat);
    }
}

/// A point within 127 of some center joins a cluster, and the one it joins
/// has a center nearest to it: no other center is closer.
pub proof fn lemma_assigned_nearest(centers: Seq<i8>, p: i8, c: int)
    requires
        0 <= c < centers.len(),
        dist(centers[c], p) < 127,
    ensures
        0 <= assigned(centers, p) < centers.len(),
        forall|k: int|
            0 <= k < centers.len() ==> dist(centers[assigned(centers, p)], p) <= dist(
                #[trigger] centers[k],
                p,
            ),
        forall|k: int|
            0 <= k < assigned(centers, p) ==> dist(centers[assigned(centers, p)], p) < dist(
                #[trigger] centers[k],
                p,
            ),
        forall|k: int|
            0 <= k < centers.len() ==> {
                let a = centers[assigned(centers, p)] as int - p as int;
                let b = #[trigger] centers[k] as int - p as int;
                (if a >= 0 { a } else { -a }) <= (if b >= 0 { b } else { -b })
            },
{
    lemma_min_dist(centers, p, centers.len());
    lemma_first_at_found(centers, p, min_dist(centers, p, centers.len()), 0);
}

/// The mean is rounded toward zero: the quotient `q` of `a` by `b > 0`
/// leaves a remainder `a - q * b` smaller than `b` in size and of the sign
/// of `a`.
pub proof fn lemma_trunc_div(a: int, b: int)
    requires
        b > 0,
    ensures
        a >= 0 ==> 0 <= a - trunc_div(a, b) * b < b,
        a < 0 ==> -b < a - trunc_div(a, b) * b <= 0,
{
    if a >= 0 {
        let q = a / b;
        vstd::arithmetic::div_mod::lemma_fundamental_div_mod(a, b);
        vstd::arithmetic::div_mod::lemma_mod_bound(a, b);
        assert(q * b == b * q) by (nonlinear_arith);
    } else {
        let q = (-a) / b;
        vstd::arithmetic::div_mod::lemma_fundamental_div_mod(-a, b);
        vstd::arithmetic::div_mod::lemma_mod_bound(-a, b);
        assert((-q) * b == -(b * q)) by (nonlinear_arith);
    }
}

/// The distance between a center and a point is the gap between them as
/// integers, never negative.
pub proof fn lemma_dist_is_gap(c: i8, p: i8)
    ensures
        dist(c, p) >= 0,
        dist(c, p) == c as int - p as int || dist(c, p) == p as int - c as int,
{
}

/// Distance from a center to a point, computed as the clustering does.
fn distance(c: i8, p: i8) -> (d: i32)
    ensures
        d == dist(c, p),
{
    let mut d: i32 = (c as i32) - (p as i32);
    if d < 0 {
        d = -d;
    }
    d
}

/// One-dimensional k-means over at most 50 points: five clusters start at
/// centers -50, 0, 50, 100 and -106; each of twenty rounds assigns every
/// point to the first cluster at the smallest distance (a point farther
/// than 127 from every center joins the first at exactly 127, if any) and
/// moves each center to the mean of its points, rounded toward zero. The
/// clusters come back with their final centers and no members. Every round
/// must leave every cluster some point: a mean of no points is undefined.
pub fn kmeans(pts: heapless::Vec<i8, 50>) -> (clusters: heapless::Vec<Cluster, 5>)
    requires
        defined_through(point_list(pts), ROUNDS as nat),
    ensures
        cluster_list(clusters).len() == NUM_CLUSTERS,
        centers_of(cluster_list(clusters)) == centers_after(point_list(pts), ROUNDS as nat),
        forall|k: int|
            0 <= k < NUM_CLUSTERS ==> point_list(#[trigger] cluster_list(clusters)[k].members)
                == Seq::<i8>::empty(),
{
    let ghost ps = point_list(pts);
    let mut clusters = clusters_new();
    let mut x: i8 = -100;
    let mut i: usize = 0;
    while i < NUM_CLUSTERS
        invariant
            i <= NUM_CLUSTERS,
            cluster_list(clusters).len() == i,
            i > 0 ==> x == initial_centers()[i - 1],
            i == 0 ==> x == -100,
            forall|k: int| 0 <= k < i ==> #[trigger] cluster_list(clusters)[k].center
                == initial_centers()[k],
            forall|k: int|
                0 <= k < i ==> point_list(#[trigger] cluster_list(clusters)[k].members)
                    == Seq::<i8>::empty(),
        decreases NUM_CLUSTERS - i,
    {
        x = x.wrapping_add(50);
        let _ = clusters_push(&mut clusters, Cluster { members: points_new(), center: x });
        i = i + 1;
    }
    let n = points_len(&pts);
    let mut mov: u32 = ROUNDS;
    while mov != 0
        invariant
            mov <= ROUNDS,
            point_list(pts) == ps,
            n == ps.len(),
            n <= 50,
            defined_through(ps, ROUNDS as nat),
            cluster_list(clusters).len() == NUM_CLUSTERS,
            centers_of(cluster_list(clusters)) == centers_after(ps, (ROUNDS - mov) as nat),
            forall|k: int|
                0 <= k < NUM_CLUSTERS ==> point_list(#[trigger] cluster_list(clusters)[k].members)
                    == Seq::<i8>::empty(),
        decreases mov,
    {
        let ghost cs = centers_of(cluster_list(clusters));
        proof {
            lemma_defined_prefix(ps, ROUNDS as nat, (ROUNDS - mov) as nat);
        }
        // assign every point to a cluster
        let mut j: usize = 0;
        while j < n
            invariant
                j <= n,
                point_list(pts) == ps,
                n == ps.len(),
                n <= 50,
                cluster_list(clusters).len() == NUM_CLUSTERS,
                centers_of(cluster_list(clusters)) == cs,
                forall|k: int|
                    0 <= k < NUM_CLUSTERS ==> point_list(#[trigger] cluster_list(clusters)[k].members)
                        == members_of(cs, ps.take(j as int), k),
            decreases n - j,
        {
            let p = points_get(&pts, j);
            let mut min: i32 = 127;
            let mut k: usize = 0;
            while k < NUM_CLUSTERS
                invariant
                    k <= NUM_CLUSTERS,
                    cluster_list(clusters).len() == NUM_CLUSTERS,
                    centers_of(cluster_list(clusters)) == cs,
                    min == min_dist(cs, p, k as nat),
                decreases NUM_CLUSTERS - k,
            {
                let d = distance(clusters_get(&clusters, k).center, p);
                if d < min {
                    min = d;
                }
                k = k + 1;
            }
            let ghost before = cluster_list(clusters);
            let ghost target = assigned(cs, p);
            let mut a: usize = 0;
            while a < NUM_CLUSTERS
                invariant_except_break
                    a <= NUM_CLUSTERS,
                    cluster_list(clusters) == before,
                    first_at(cs, p, min as int, a as int) == target,
                invariant
                    point_list(pts) == ps,
                    n == ps.len(),
                    n <= 50,
                    j < n,
                    p == ps[j as int],
                    before.len() == NUM_CLUSTERS,
                    centers_of(before) == cs,
                    forall|k: int|
                        0 <= k < NUM_CLUSTERS ==> point_list(#[trigger] before[k].members)
                            == members_of(cs, ps.take(j as int), k),
                ensures
                    cluster_list(clusters).len() == NUM_CLUSTERS,
                    centers_of(cluster_list(clusters)) == cs,
                    forall|k: int|
                        0 <= k < NUM_CLUSTERS ==> point_list(
                            #[trigger] cluster_list(clusters)[k].members,
                        ) == if k == target {
                            point_list(before[k].members).push(p)
                        } else {
                            point_list(before[k].members)
                        },
                decreases NUM_CLUSTERS - a,
            {
                let d = distance(clusters_get(&clusters, a).center, p);
                if d == min {
                    let mut cl = clusters_replace(
                        &mut clusters,
                        a,
                        Cluster { members: points_new(), center: 0 },
                    );
                    proof {
                        lemma_members_len(cs, ps.take(j as int), a as int);
                    }
                    let _ = points_push(&mut cl.members, p);
                    let _ = clusters_replace(&mut clusters, a, cl);
                    break;
                }
                a = a + 1;
            }
            proof {
                assert forall|k: int| 0 <= k < NUM_CLUSTERS implies point_list(
                    #[trigger] cluster_list(clusters)[k].members,
                ) == members_of(cs, ps.take(j + 1), k) by {
                    lemma_members_step(cs, ps, j as int, k);
                }
            }
            j = j + 1;
        }
        assert(ps.take(n as int) =~= ps);
        // move every center to the mean of its points
        let mut b: usize = 0;
        while b < NUM_CLUSTERS
            invariant
                b <= NUM_CLUSTERS,
                round_defined(cs, ps),
                cs.len() == NUM_CLUSTERS,
                cluster_list(clusters).len() == NUM_CLUSTERS,
                forall|k: int|
                    0 <= k < b ==> #[trigger] cluster_list(clusters)[k].center == next_centers(
                        cs,
                        ps,
                    )[k],
                forall|k: int|
                    0 <= k < b ==> point_list(#[trigger] cluster_list(clusters)[k].members)
                        == Seq::<i8>::empty(),
                forall|k: int|
                    b <= k < NUM_CLUSTERS ==> #[trigger] cluster_list(clusters)[k].center
                        == cs[k],
                forall|k: int|
                    b <= k < NUM_CLUSTERS ==> point_list(#[trigger] cluster_list(clusters)[k].members)
                        == members_of(cs, ps, k),
            decreases NUM_CLUSTERS - b,
        {
            let mut cl = clusters_replace(
                &mut clusters,
                b,
                Cluster { members: points_new(), center: 0 },
            );
            let ghost ms = point_list(cl.members);
            let m = points_len(&cl.members);
            let mut total: i32 = 0;
            let mut t: usize = 0;
            while t < m
                invariant
                    t <= m,
                    m == ms.len(),
                    m <= 50,
                    point_list(cl.members) == ms,
                    total == sum(ms.take(t as int)),
                    -128 * t <= total <= 127 * t,
                decreases m - t,
            {
                let v = points_get(&cl.members, t);
                assert(ms.take(t + 1).drop_last() =~= ms.take(t as int));
                total = total + v as i32;
                t = t + 1;
            }
            assert(ms.take(m as int) =~= ms);
            let avg = total / (m as i32);
            cl.center = avg as i8;
            points_clear(&mut cl.members);
            let _ = clusters_replace(&mut clusters, b, cl);
            b = b + 1;
        }
        mov = mov - 1;
    }
    clusters
}

/// The cluster `p` joins, as `assigned` says, for centers held in order.
fn nearest(centers: &Vec<i8>, p: i8) -> (k: usize)
    ensures
        k == assigned(centers@, p),
{
    let n = centers.len();
    let mut min: i32 = 127;
    let mut k: usize = 0;
    while k < n
        invariant
            n == centers@.len(),
            k <= n,
            min == min_dist(centers@, p, k as nat),
        decreases n - k,
    {
        let d = distance(centers[k], p);
        if d < min {
            min = d;
        }
        k = k + 1;
    }
    let mut a: usize = 0;
    while a < n
        invariant
            n == centers@.len(),
            a <= n,
            min == min_dist(centers@, p, n as nat),
            first_at(centers@, p, min as int, a as int) == assigned(centers@, p),
        decreases n - a,
    {
        if distance(centers[a], p) == min {
            return a;
        }
        a = a + 1;
    }
    n
}

/// Whether `kmeans` is defined on `pts`: whether each of its rounds leaves
/// every cluster some point. The rounds are played on the centers alone.
pub fn kmeans_defined(pts: &heapless::Vec<i8, 50>) -> (ok: bool)
    ensures
        ok == defined_through(point_list(*pts), ROUNDS as nat),
{
    let ghost ps = point_list(*pts);
    let n = points_len(pts);
    let mut centers: Vec<i8> = vec![-50i8, 0i8, 50i8, 100i8, -106i8];
    let mut r: u32 = 0;
    while r < ROUNDS
        invariant
            r <= ROUNDS,
            point_list(*pts) == ps,
            n == ps.len(),
            n <= 50,
            centers@ == centers_after(ps, r as nat),
            centers@.len() == NUM_CLUSTERS,
            defined_through(ps, r as nat),
        decreases ROUNDS - r,
    {
        let ghost cs = centers@;
        let mut counts: Vec<i32> = vec![0i32, 0i32, 0i32, 0i32, 0i32];
        let mut sums: Vec<i32> = vec![0i32, 0i32, 0i32, 0i32, 0i32];
        let mut j: usize = 0;
        while j < n
            invariant
                j <= n,
                n == ps.len(),
                n <= 50,
                point_list(*pts) == ps,
                centers@ == cs,
                cs.len() == NUM_CLUSTERS,
                counts@.len() == NUM_CLUSTERS,
                sums@.len() == NUM_CLUSTERS,
                forall|k: int|
                    0 <= k < NUM_CLUSTERS ==> #[trigger] counts@[k] == members_of(
                        cs,
                        ps.take(j as int),
                        k,
                    ).len(),
                forall|k: int|
                    0 <= k < NUM_CLUSTERS ==> #[trigger] sums@[k] == sum(
                        members_of(cs, ps.take(j as int), k),
                    ),
                forall|k: int|
                    0 <= k < NUM_CLUSTERS ==> -128 * j <= #[trigger] sums@[k] <= 127 * j,
            decreases n - j,
        {
            let p = points_get(pts, j);
            let a = nearest(&centers, p);
            proof {
                assert forall|k: int| 0 <= k < NUM_CLUSTERS implies members_of(
                    cs,
                    ps.take(j + 1),
                    k,
                ) == if a == k {
                    members_of(cs, ps.take(j as int), k).push(p)
                } else {
                    members_of(cs, ps.take(j as int), k)
                } by {
                    lemma_members_step(cs, ps, j as int, k);
                }
                assert forall|k: int| 0 <= k < NUM_CLUSTERS implies #[trigger] counts@[k]
                    <= j by {
                    lemma_members_len(cs, ps.take(j as int), k);
                }
            }
            if a < NUM_CLUSTERS {
                let c = counts[a] + 1;
                counts.set(a, c);
                let t = sums[a] + p as i32;
                sums.set(a, t);
                assert(members_of(cs, ps.take(j + 1), a as int).drop_last() =~= members_of(
                    cs,
                    ps.take(j as int),
                    a as int,
                ));
            }
            j = j + 1;
        }
        assert(ps.take(n as int) =~= ps);
        let mut b: usize = 0;
        while b < NUM_CLUSTERS
            invariant
                b <= NUM_CLUSTERS,
                r < ROUNDS,
                point_list(*pts) == ps,
                cs == centers_after(ps, r as nat),
                cs.len() == NUM_CLUSTERS,
                centers@.len() == NUM_CLUSTERS,
                counts@.len() == NUM_CLUSTERS,
                sums@.len() == NUM_CLUSTERS,
                forall|k: int|
                    0 <= k < NUM_CLUSTERS ==> #[trigger] counts@[k] == members_of(cs, ps, k).len(),
                forall|k: int|
                    0 <= k < NUM_CLUSTERS ==> #[trigger] sums@[k] == sum(members_of(cs, ps, k)),
                forall|k: int| 0 <= k < b ==> members_of(cs, ps, k).len() > 0,
                forall|k: int| 0 <= k < b ==> #[trigger] centers@[k] == next_centers(cs, ps)[k],
            decreases NUM_CLUSTERS - b,
        {
            if counts[b] == 0 {
                proof {
                    if defined_through(ps, ROUNDS as nat) {
                        lemma_defined_prefix(ps, ROUNDS as nat, r as nat);
                    }
                }
                return false;
            }
            let avg = sums[b] / counts[b];
            centers.set(b, avg as i8);
            b = b + 1;
        }
        r = r + 1;
    }
    true
}

/// `kmeans` where it is defined: `None` when some round would leave a
/// cluster without points.
pub fn try_kmeans(pts: heapless::Vec<i8, 50>) -> (result: Option<heapless::Vec<Cluster, 5>>)
    ensures
        result is Some <==> defined_through(point_list(pts), ROUNDS as nat),
        result matches Some(clusters) ==> {
            &&& cluster_list(clusters).len() == NUM_CLUSTERS
            &&& centers_of(cluster_list(clusters)) == centers_after(point_list(pts), ROUNDS as nat)
            &&& forall|k: int|
                0 <= k < NUM_CLUSTERS ==> point_list(#[trigger] cluster_list(clusters)[k].members)
                    == Seq::<i8>::empty()
        },
{
    if kmeans_defined(&pts) {
        Some(kmeans(pts))
    } else {
        None
    }
}

} // verus!
