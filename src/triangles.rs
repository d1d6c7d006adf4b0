use vstd::prelude::*;
use crate::loops::IndexEdge;

verus! {

/// Some edge of `edges` joins the points `i` and `x`, in either direction.
pub open spec fn joined(edges: Seq<IndexEdge>, i: usize, x: usize) -> bool {
    exists|k: int| 0 <= k < edges.len() && (#[trigger] edges[k] == (i, x) || edges[k] == (x, i))
}

/// `(i, a, b)` is a triangle of the chord graph `edges` whose first corner
/// is its smallest: `(a, b)` is an edge, and `i` is joined to both `a` and
/// `b`.
pub open spec fn fan_triangle(edges: Seq<IndexEdge>, t: (usize, usize, usize)) -> bool {
    &&& t.0 < t.1 && t.0 < t.2
    &&& edges.contains((t.1, t.2))
    &&& joined(edges, t.0, t.1)
    &&& joined(edges, t.0, t.2)
}

/// The other end of an edge with an end at `i`.
pub open spec fn other_end(e: IndexEdge, i: usize) -> usize {
    if e.0 == i {
        e.1
    } else {
        e.0
    }
}

/// Whether one end of `e` is the point `i`.
pub open spec fn touches_point(e: IndexEdge, i: usize) -> bool {
    e.0 == i || e.1 == i
}

fn contains_point(v: &Vec<usize>, x: usize) -> (r: bool)
    ensures
        r == v@.contains(x),
{
    let mut k: usize = 0;
    while k < v.len()
        invariant
            k <= v@.len(),
            forall|q: int| 0 <= q < k ==> v@[q] != x,
        decreases v@.len() - k,
    {
        if v[k] == x {
            return true;
        }
        k = k + 1;
    }
    false
}

/// Whether some edge of `edges` joins the points `i` and `x`.
pub fn are_joined(edges: &Vec<IndexEdge>, i: usize, x: usize) -> (r: bool)
    ensures
        r == joined(edges@, i, x),
{
    let mut k: usize = 0;
    while k < edges.len()
        invariant
            k <= edges@.len(),
            forall|q: int| 0 <= q < k ==> #[trigger] edges@[q] != (i, x) && edges@[q] != (x, i),
        decreases edges@.len() - k,
    {
        let (a, b) = edges[k];
        if (a == i && b == x) || (a == x && b == i) {
            assert(edges@[k as int] == (i, x) || edges@[k as int] == (x, i));
            return true;
        }
        k = k + 1;
    }
    false
}

proof fn lemma_remove_keeps_distinct<A>(s: Seq<A>, j: int)
    requires
        0 <= j < s.len(),
        s.no_duplicates(),
    ensures
        s.remove(j).no_duplicates(),
{
    let r = s.remove(j);
    assert forall|p: int, q: int| 0 <= p < q < r.len() implies r[p] != r[q] by {
        let sp = if p < j { p } else { p + 1 };
        let sq = if q < j { q } else { q + 1 };
        assert(r[p] == s[sp] && r[q] == s[sq]);
    }
}

/// Assembles the triangles of a triangulated face from its edges and chords
/// over `n` points. Points are taken in increasing order; for each, its
/// edges are taken out of the graph, and every remaining edge between two of
/// its neighbours closes a triangle. The result holds exactly the triangles
/// whose first corner is their smallest point below `n`, each once when no
/// edge is listed twice.
pub fn fan_triangles(n: usize, edges: Vec<IndexEdge>) -> (r: Vec<(usize, usize, usize)>)
    ensures
        forall|k: int| 0 <= k < r@.len() ==> fan_triangle(edges@, #[trigger] r@[k]) && r@[k].0 < n,
        forall|t: (usize, usize, usize)|
            t.0 < n && #[trigger] fan_triangle(edges@, t) ==> r@.contains(t),
        edges@.no_duplicates() ==> r@.no_duplicates(),
{
    let ghost all = edges@;
    let mut rest = edges;
    let mut tris: Vec<(usize, usize, usize)> = Vec::new();
    let mut i: usize = 0;
    while i < n
        invariant
            all == edges@,
            i <= n,
            forall|k: int| 0 <= k < rest@.len() ==> all.contains(#[trigger] rest@[k]),
            forall|k: int| 0 <= k < rest@.len() ==> (#[trigger] rest@[k]).0 >= i && rest@[k].1 >= i,
            forall|e: IndexEdge| #[trigger] all.contains(e) && e.0 >= i && e.1 >= i ==> rest@.contains(e),
            forall|k: int| 0 <= k < tris@.len() ==> fan_triangle(all, #[trigger] tris@[k]) && tris@[k].0 < i,
            forall|t: (usize, usize, usize)|
                t.0 < i && #[trigger] fan_triangle(all, t) ==> tris@.contains(t),
            all.no_duplicates() ==> rest@.no_duplicates(),
            all.no_duplicates() ==> tris@.no_duplicates(),
        decreases n - i,
    {
        let ghost start = rest@;
        let mut adjacent: Vec<usize> = Vec::new();
        let mut j: usize = 0;
        while j < rest.len()
            invariant
                j <= rest@.len(),
                forall|k: int| 0 <= k < j ==> !touches_point(#[trigger] rest@[k], i),
                forall|k: int| 0 <= k < rest@.len() ==> start.contains(#[trigger] rest@[k]),
                forall|e: IndexEdge|
                    #[trigger] start.contains(e) ==> rest@.contains(e) || (touches_point(e, i)
                        && adjacent@.contains(other_end(e, i))),
                forall|q: int| 0 <= q < adjacent@.len() ==> joined(all, i, #[trigger] adjacent@[q]),
                forall|k: int| 0 <= k < start.len() ==> all.contains(#[trigger] start[k]),
                all.no_duplicates() ==> rest@.no_duplicates(),
            decreases rest@.len() - j,
        {
            let (x, y) = rest[j];
            if x == i || y == i {
                let ghost before = rest@;
                let ghost a0 = adjacent@;
                let e = rest.remove(j);
                let other = if x == i { y } else { x };
                adjacent.push(other);
                proof {
                    if all.no_duplicates() {
                        lemma_remove_keeps_distinct(before, j as int);
                    }
                    assert(all.contains(e));
                    let w = choose|w: int| 0 <= w < all.len() && all[w] == e;
                    assert(all[w] == (i, other) || all[w] == (other, i));
                    assert(joined(all, i, other));
                    assert forall|f: IndexEdge| #[trigger] start.contains(f) implies rest@.contains(f) || (
                    touches_point(f, i) && adjacent@.contains(other_end(f, i))) by {
                        if before.contains(f) {
                            let w2 = choose|w2: int| 0 <= w2 < before.len() && before[w2] == f;
                            if w2 < j {
                                assert(rest@[w2] == f);
                            } else if w2 > j {
                                assert(rest@[w2 - 1] == f);
                            } else {
                                assert(adjacent@[adjacent@.len() - 1] == other);
                            }
                        } else {
                            assert(a0.contains(other_end(f, i)));
                            let w3 = choose|w3: int| 0 <= w3 < a0.len() && a0[w3] == other_end(f, i);
                            assert(adjacent@[w3] == other_end(f, i));
                        }
                    }
                    assert forall|k: int| 0 <= k < rest@.len() implies start.contains(#[trigger] rest@[k]) by {
                        if k < j {
                            assert(rest@[k] == before[k]);
                        } else {
                            assert(rest@[k] == before[k + 1]);
                        }
                    }
                    assert forall|q: int| 0 <= q < adjacent@.len() implies joined(all, i, #[trigger] adjacent@[q]) by {
                        if q < a0.len() {
                            assert(adjacent@[q] == a0[q]);
                        }
                    }
                }
            } else {
                j = j + 1;
            }
        }
        let ghost cleared = rest@;
        proof {
            assert forall|e: IndexEdge| #[trigger] all.contains(e) && e.0 > i && e.1 > i implies rest@.contains(e) by {
                assert(start.contains(e));
                if !rest@.contains(e) {
                    assert(touches_point(e, i));
                }
            }
            assert forall|k: int| 0 <= k < rest@.len() implies (#[trigger] rest@[k]).0 > i && rest@[k].1 > i by {
                assert(start.contains(rest@[k]));
                let w = choose|w: int| 0 <= w < start.len() && start[w] == rest@[k];
                assert(start[w].0 >= i && start[w].1 >= i);
            }
        }
        let mut m: usize = 0;
        let ghost t0 = tris@;
        while m < rest.len()
            invariant
                rest@ == cleared,
                m <= rest@.len(),
                forall|k: int| 0 <= k < rest@.len() ==> all.contains(#[trigger] rest@[k]),
                forall|k: int| 0 <= k < rest@.len() ==> (#[trigger] rest@[k]).0 > i && rest@[k].1 > i,
                forall|q: int| 0 <= q < adjacent@.len() ==> joined(all, i, #[trigger] adjacent@[q]),
                forall|k: int| 0 <= k < t0.len() ==> #[trigger] tris@[k] == t0[k],
                t0.len() <= tris@.len(),
                forall|k: int| 0 <= k < t0.len() ==> fan_triangle(all, #[trigger] t0[k]) && t0[k].0 < i,
                forall|k: int|
                    t0.len() <= k < tris@.len() ==> fan_triangle(all, #[trigger] tris@[k]) && tris@[k].0 == i,
                forall|k: int|
                    0 <= k < m && adjacent@.contains(rest@[k].0) && adjacent@.contains(#[trigger] rest@[k].1)
                        ==> tris@.contains((i, rest@[k].0, rest@[k].1)),
                all.no_duplicates() ==> rest@.no_duplicates(),
                all.no_duplicates() ==> tris@.no_duplicates(),
                forall|k: int|
                    t0.len() <= k < tris@.len() ==> rest@.subrange(0, m as int).contains(
                        (#[trigger] tris@[k].1, tris@[k].2),
                    ),
            decreases rest@.len() - m,
        {
            let (a, b) = rest[m];
            if contains_point(&adjacent, a) && contains_point(&adjacent, b) {
                let ghost t1 = tris@;
                tris.push((i, a, b));
                proof {
                    assert(all.contains((a, b)));
                    let qa = choose|q: int| 0 <= q < adjacent@.len() && adjacent@[q] == a;
                    let qb = choose|q: int| 0 <= q < adjacent@.len() && adjacent@[q] == b;
                    assert(joined(all, i, adjacent@[qa]));
                    assert(joined(all, i, adjacent@[qb]));
                    assert(fan_triangle(all, (i, a, b)));
                    assert forall|k: int|
                        t0.len() <= k < tris@.len() implies rest@.subrange(0, m + 1).contains(
                            (#[trigger] tris@[k].1, tris@[k].2),
                        ) by {
                        if k < tris@.len() - 1 {
                            assert(tris@[k] == t1[k]);
                            let w = choose|w: int| 0 <= w < m && rest@.subrange(0, m as int)[w] == (t1[k].1, t1[k].2);
                            assert(rest@.subrange(0, m + 1)[w] == rest@[w]);
                        } else {
                            assert(rest@.subrange(0, m + 1)[m as int] == (a, b));
                        }
                    }
                    if all.no_duplicates() {
                        assert forall|p: int, q: int| 0 <= p < q < tris@.len() implies tris@[p] != tris@[q] by {
                            if q < tris@.len() - 1 {
                                assert(tris@[p] == t1[p] && tris@[q] == t1[q]);
                            } else if p < t0.len() {
                                assert(tris@[p] == t0[p]);
                            } else {
                                assert(tris@[p] == t1[p]);
                                let w = choose|w: int| 0 <= w < m && rest@.subrange(0, m as int)[w] == (t1[p].1, t1[p].2);
                                assert(rest@[w] != rest@[m as int]);
                            }
                        }
                    }
                    assert forall|k: int|
                        0 <= k < m + 1 && adjacent@.contains(rest@[k].0) && adjacent@.contains(
                            #[trigger] rest@[k].1,
                        ) implies tris@.contains((i, rest@[k].0, rest@[k].1)) by {
                        if k < m {
                            let w = choose|w: int| 0 <= w < t1.len() && t1[w] == (i, rest@[k].0, rest@[k].1);
                            assert(tris@[w] == t1[w]);
                        } else {
                            assert(tris@[tris@.len() - 1] == (i, a, b));
                        }
                    }
                }
            } else {
                proof {
                    assert forall|k: int|
                        t0.len() <= k < tris@.len() implies rest@.subrange(0, m + 1).contains(
                            (#[trigger] tris@[k].1, tris@[k].2),
                        ) by {
                        let w = choose|w: int| 0 <= w < m && rest@.subrange(0, m as int)[w] == (tris@[k].1, tris@[k].2);
                        assert(rest@.subrange(0, m + 1)[w] == rest@[w]);
                    }
                }
            }
            m = m + 1;
        }
        proof {
            assert forall|k: int| 0 <= k < tris@.len() implies fan_triangle(all, #[trigger] tris@[k]) && tris@[k].0 < i + 1 by {
                if k < t0.len() {
                    assert(tris@[k] == t0[k]);
                }
            }
            assert forall|t: (usize, usize, usize)|
                t.0 < i + 1 && #[trigger] fan_triangle(all, t) implies tris@.contains(t) by {
                if t.0 < i {
                    let w = choose|w: int| 0 <= w < t0.len() && t0[w] == t;
                    assert(tris@[w] == t);
                } else {
                    assert(all.contains((t.1, t.2)));
                    assert(rest@.contains((t.1, t.2)));
                    let ka = choose|k: int| 0 <= k < all.len() && (#[trigger] all[k] == (i, t.1) || all[k] == (t.1, i));
                    let kb = choose|k: int| 0 <= k < all.len() && (#[trigger] all[k] == (i, t.2) || all[k] == (t.2, i));
                    assert(all.contains(all[ka]));
                    assert(all.contains(all[kb]));
                    assert(start.contains(all[ka]));
                    assert(start.contains(all[kb]));
                    assert(adjacent@.contains(t.1));
                    assert(adjacent@.contains(t.2));
                    let k = choose|k: int| 0 <= k < rest@.len() && rest@[k] == (t.1, t.2);
                    assert(adjacent@.contains(rest@[k].0));
                }
            }
        }
        i = i + 1;
    }
    assert forall|k: int| 0 <= k < tris@.len() implies fan_triangle(edges@, #[trigger] tris@[k]) && tris@[k].0 < n by {
        assert(fan_triangle(all, tris@[k]));
    }
    tris
}

} // verus!
